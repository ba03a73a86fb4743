# localhost

A small HTTP/1.1 server whose request handling is verified with Verus.

- `src/` is the verified library: the request parser (`message`), header
  tables (`table`), responses and their wire format (`response`), login
  sessions and cookies (`session`), routing and page resolution (`server`),
  multipart uploads (`upload`), CGI output (`cgi`), configuration cleaning
  (`loader`), the connection loop's decisions (`mux`), and the text helpers
  they share (`text`, `percent`). Public proof functions state the laws the
  library keeps, such as the cookie round trip and what cleaning a session
  store keeps.
- `app/` is the program around it: reading `config/server.toml`, the `epoll`
  loop over sockets, template rendering with `tera`, directory listings,
  running CGI scripts, and writing or deleting uploaded files.
- `tests/` runs the library on concrete requests.
