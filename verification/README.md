# overfwd

A stateless mailbox gateway: a REST facade and an MCP server over remote IMAP and SMTP
mailboxes. It keeps no credential and no mail; a request brings the mailbox credential
along, and what the request comes to is a function of the two.

The gateway is written in two parts.

- `src/` is the library, in Verus: every rule of the gateway, with its contract and proof.
  Configuration, both axes of access, the address policy, deriving mail servers from a
  domain, warm connections, search keys, reading and writing messages, errors, and the
  JSON-RPC endpoint.
- `app/` is the server around it: sockets, TLS, DNS, HTTP, JSON and the command loop of an
  IMAP session. It asks the library what to do next, does it, and hands the answer back.

`tests/` runs the library on given values.

| Module | What it decides |
|--------|-----------------|
| `text`, `net`, `headers`, `json` | text, addresses, request headers, JSON values |
| `error` | the errors, their codes and statuses |
| `config`, `openapi` | the configuration and the API's security schemes |
| `auth` | the gateway key, the mailbox headers, the credential |
| `endpoint` | which targets are public |
| `autoconfig`, `ladder`, `answers` | the mail servers of a domain, and what is asked for them |
| `pool` | which connections are reused and which are closed |
| `imap`, `routes` | searches, fetches, summaries |
| `session` | the course of a read, from finding a session to keeping or closing it |
| `smtp`, `send` | messages, envelopes, disclosures |
| `mcp` | the JSON-RPC endpoint and its tools |
