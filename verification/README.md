# cube200

A cube with two hundred cells along each edge of a face, in verified Rust.

- `src/` is the library: turns of the cube and the laws that they obey, counts of solved cells, the
  search for moves that solve more of them, scrambling, Base64, and the HTTP requests that a running
  solver answers. Verus proves the contracts of its functions; only what two functions of the
  standard library do, `str::from_utf8` and `String::from_utf8_lossy`, is taken on trust.
- `app/` holds the two programs around it. `init` scrambles a cube into `data.bin`; `calc` reads it,
  solves it with several threads and listens on `127.0.0.1:62001`.
- `tests/` runs the library on examples.

| Request         | Answer                                             |
|-----------------|----------------------------------------------------|
| `GET /health`   | `OK`                                               |
| `GET /status`   | the progress in JSON                               |
| `GET /cube`     | the whole cube in JSON, its cells in Base64        |
| `POST /control` | carries out `start`, `pause` or `shutdown`         |

A turn around the front/back axis is not undone by the turn in the other direction: the two
directions read two of the four strips in different orders, and `turn_laws` says on which cubes
this shows.
