# chennix

The rules of a gateway that serves several users from several AI providers through one interface,
written in Verus, and a server around them.

- A client asks for a model by a name; case and surrounding white space do not matter.
- The model is bound to upstream models of channels. Bindings are tried by priority, or drawn by
  weight; within a binding the keys are tried one after the other.
- A key that fails is left alone on that upstream model for a time that doubles with each failure;
  one that is refused is disabled. A request is retried on a bounded number of keys.
- The estimated cost of a request is charged in advance to its user and to its token, and settled
  or refunded when the request is over. An unlimited token charges its user alone.
- Administrators manage users, tokens, channels, keys, models and bindings.

## Layout

- `src/` is the library. Every function states what it does in its contract, and Verus proves it.
  Laws that relate several functions are the proof functions whose names begin with `law_`.
- `tests/` runs the library on concrete values.
- `app/` is the server: HTTP, the database, files, timers, and the arithmetic on prices, which is
  floating point.

| Module | What it holds |
|--------|---------------|
| `types`, `error`, `table`, `text`, `json`, `clock` | data types, errors, tables, text, JSON documents, dates |
| `normalizer`, `cache`, `snapshot` | model names, and the configuration that requests are routed by |
| `router`, `health` | the order of the keys, cooldowns, disabled keys, quotas of upstream models |
| `executor`, `dispatch`, `upstream`, `adaptor`, `request`, `sse` | the course of a request, what is sent upstream and read from the answers |
| `pricing`, `billing_expr`, `billing`, `tracker` | what a request is charged by, the accounts, what is recorded |
| `auth`, `password`, `session` | tokens, roles, passwords, sessions |
| `proxy`, `answer`, `admin`, `assets`, `config` | the endpoints, their answers, the admin interface, its files, the configuration |

What other crates compute (JSON, dates, password hashes, random numbers and identifiers) is called
through small functions whose contracts are trusted; each says which function it calls.
