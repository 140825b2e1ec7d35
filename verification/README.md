# dott

Private domain search for the terminal: a name is checked in twenty top-level
domains at once, by RDAP, WHOIS and DNS over HTTPS, with nobody in between.

- `src/` is the library, written in Verus. It decides whom to ask for a domain,
  reads the answers, merges them, and composes what is shown. Its contracts say
  what each function returns, and its public proof functions (`law_...`) what
  holds of the library as a whole.
- `app/` is the program around it: sockets, files, the clock of a session, the
  keyboard and the terminal.
- `tests/` runs the library on concrete values.

| module | about |
| --- | --- |
| `text`, `unicode` | texts as sequences of characters |
| `dates`, `calendar` | dates in texts, and the days between them |
| `model`, `config` | what is known of a domain, and of the registries |
| `json`, `rdap`, `dns`, `whois` | the three sources |
| `merge`, `cache` | one status out of three, kept for a minute |
| `paint`, `format`, `screens` | what is shown |
| `search`, `suggest` | listings, and names to try instead |
| `watch`, `notify`, `update` | the watchlist, notices, newer releases |
| `cli`, `command`, `input` | what is asked for |
