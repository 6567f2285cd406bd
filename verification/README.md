# sei_bot

The Discord bot of the SEI'21 event, with its core written in Verus.

- `src/` is the verified library: the per-guild tables of tiers and
  companies (kept as association lists with unique keys), name
  normalisation, the company listing sent to new company representatives,
  the decisions of the chat commands, of the HTTP endpoints and of the
  direct-message handler, the replies the bot writes, and the bodies and
  addresses of the requests to the event's backend.  Every public function
  carries a contract, and the laws that relate the operations (a value put
  under a name is what a lookup gives back, ending a spotlight undoes
  starting it, every mutator keeps the keys unique, ...) are proof functions
  next to the code they speak of.
- `app/` is the program around it: the serenity client and its command
  framework, the rocket endpoints, the reqwest calls to the backend, the JSON
  file in which the tables are saved, and the environment.
- `tests/` exercise the library on concrete values.
