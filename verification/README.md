# hunt_tracker

The accounting of a hunting session, verified with Verus: which weapon fired
each shot and what it cost, which kill it settled into, what was looted, and
what the live readout shows of it.

Money, damage and percentages are integers of 10^-12; instants and durations
are nanoseconds. Everything random, timed or stored is handed in: a decision
gives what is to be written, and is taken into memory with the writer's answer.

- `attribution`, `regime`: naming the weapon behind a combat line, the standing
  mismatch, and what confirming or keeping it moves. Laws in `regime_laws`.
- `effects`, `evidence`: the damage-over-time windows paid hits open, and the
  stored rows of shots. Laws in `evidence_laws`.
- `phases`, `combat`, `loot`, `decision`: booking shots into cost phases,
  settling kills and swings, and moving booked shots. Laws in `session_laws`.
- `intervals`, `activities`, `commands`: what is declared while a session runs.
  Laws in `interval_laws`.
- `doses`: consumables that run, end, and are taken back. Laws in `dose_laws`.
- `session`, `lifecycle`, `steps`: the live session, from start to stop, and the
  order in which doses end and sessions follow each other.
- `readout`, `net_curve`, `expected`, `healing`, `aggregate`, `snapshot`: what a
  session adds up to at an instant.
- `lists`, `text`, `units`, `ids`: sequences, strings, rounding, fresh ids.

`app/` wires the library to a database, a message channel and the clock.
