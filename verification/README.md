# vantage

The checks, layout and reporting rules of a command-line web security scanner:
security headers, cookies, CORS, information disclosure, CSP, HSTS, caching, auth
effectiveness, HTTP methods, DNS records and nmap/vulners. For authorized testing
only.

Every function under `src/` has a contract that Verus proves, but for the thin
wrappers around calls into other libraries, whose contracts are stated next to
them. The program around the library, under `app/`, sends the requests, runs
`nslookup` and `nmap`, and prints.

| Where | What |
|-------|------|
| `src/text.rs`, `src/number.rs`, `src/order.rs` | Strings, numbers and sorting: the vocabulary of the contracts |
| `src/term.rs`, `src/wrap.rs`, `src/style.rs`, `src/section.rs`, `src/spin.rs` | Layout on a terminal |
| `src/fields.rs`, `src/json.rs`, `src/tool.rs` | The calls into the HTTP, JSON and standard libraries, with what is claimed of them |
| `src/url.rs`, `src/base64.rs`, `src/request.rs`, `src/response.rs`, `src/rate.rs` | Targets, requests, answers and throttling |
| `src/checks/` | The checks, one file each |
| `src/cli.rs`, `src/scan.rs` | What the options ask for, and the steps of a scan |
| `src/report.rs`, `src/results.rs` | Markdown, HTML and JSON output, and the exit status |

The public `law_...` proof functions state what holds across functions: that a
wrapped line loses nothing and never overflows, that a bearer token wins over
basic credentials, that a scan ends with complete evidence, and so on.
