# howl

Howl is a hub for live data. Providers connect over a websocket and send
JSON entries; the hub folds them into one state (charts, keyed by the slug of
their title) and sends every subscriber the difference between the old and
the new state. A new subscriber first receives the whole state.

## Layout

- `src/` is the library, verified with Verus:
  - `json`: JSON values, their mathematical view and the operations on them;
  - `json_diff`: the difference between two states;
  - `slug`, `text`: slugs of titles, and the order and equality of strings;
  - `chart`, `data_utils`: charts and how titled blocks of data become charts;
  - `data_store`: the hub's state and what an entry does to it;
  - `command`: the messages between clients and the hub;
  - `server`: the registries of providers and subscribers and the hub's
    decisions about each message;
  - `base_client`: a client's decisions about outgoing and incoming messages;
  - `number`, `network`, `assoc`, `categorical`: the per-category numbers of
    nodes, decimal integers, and association lists.
- `app/` is the program around the library: the websocket server, the native,
  Python and browser clients, the serde forms of the messages, and the sums of
  floating-point numbers.
- `tests/` runs the library on concrete values.
