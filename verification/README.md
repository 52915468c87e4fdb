# mw-core

The deterministic core of a war simulation, written in Rust and verified with Verus: scenario
decoding, production baselines, the tactical tick, operations and task forces, reinforcement and
material logistics, and the runtime that orders all of it into ticks.

## Layout

- `src/` is the verified library. Every executable function states in its contract what it returns
  or changes, and Verus proves it.
- `app/` is ordinary Rust around it: files, threads, wire formats, error messages, floating-point
  arithmetic and the loops that run a tick.
- `tests/` runs the library on concrete values.

## Numbers

The library holds binary64 numbers as bit patterns (`scalar::Real`). It orders, compares and checks
them itself. Sums, products, roots and the like come from a `worksheet::Worksheet`, which maps an
operation to its result. A computation that lacks results names the operations it needs and changes
nothing; the caller evaluates them, records the results and runs the computation again. Contracts
speak of the worksheet, so they hold for any arithmetic, and `app/arithmetic.rs` supplies that of
the machine. They also say which results a computation takes: a worksheet that holds those lacks
nothing. Laws that need more of the arithmetic than that say so: `rounding::rounded` states that
results keep order and sign.

## Kernels and chance

Combat, battlefield, territory, momentum, air, naval, missile and command kernels are not part of
this crate. The library computes what they are given and takes in what they answer. Random numbers
arrive as a list of draws, and results say how many of them were used. A runtime keeps what belongs
to a kernel as a handle. Whatever a kernel does to formations, it must account for each of them: one
that is neither left nor removed, or that was not there before, is refused.

## A tick

`NativeRuntime::step` begins a tick. `TickState::next_action` goes on with it: it does what needs no
kernel, or names a kernel and its inputs, and `TickState::record` takes in the answer. At the end
`TickState::finish` gives the outcome, which `NativeRuntime::commit` publishes. Until then nothing
of the runtime changes. A tick that fails before the strategic stage leaves no trace; one that fails
later ends the runtime. `app/driver.rs` holds the loop.

| Module | Contents |
| --- | --- |
| `scenario`, `json` | scenario envelopes, painting, provinces |
| `catalogue`, `production`, `strategic` | country and city baselines, inputs of a strategic cycle |
| `simulation`, `units` | the tactical tick |
| `operations`, `taskforce` | intelligence, overrides, task forces, steering |
| `reinforcement`, `settlement`, `paycycle` | reserves, repair, replacement and new formations |
| `conservation` | what a pay cycle neither makes nor loses |
| `rounding` | what follows from the rules of rounding: treasuries, reserves, readiness |
| `air`, `casualties`, `economy` | wings, losses and who caused them, economies |
| `runtime` | policies, planning, influence, stages, boot, commit and checkpoints |
| `order`, `tables`, `text`, `views`, `numbers` | sorting, tables, hashes, views, constants |
