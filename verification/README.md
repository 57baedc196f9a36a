# rank_rooms

A server for small groups: someone opens a room (a code of four capital
letters), players join it, add or delete options, mark themselves ready, put
the options in their own order, and finally see the options ranked by the
statistics of everybody's scores.

- `src/` is the library, verified with Verus:
  - `message.rs`: message types, their JSON framing and JSON string escapes;
  - `state.rs`: players, rooms and their broadcast towers, connection errors;
  - `lobby.rs`: what each message does to a room, the handshake of a new
    connection, and the laws the room's players, ids and options keep;
  - `rooms.rs`: the set of rooms (codes kept distinct by a type invariant),
    random room codes, the per-room operations, joining, room pages;
  - `ranking.rs`: the stable ranking of options by their statistics;
  - `text.rs`: decimal numbers, commas, placeholder replacement.
- `app/` is the program around it: the HTTP and WebSocket handlers, the
  lobby behind a mutex, and the floating-point statistics of the players'
  orders.
- `tests/` runs the library on concrete values.
