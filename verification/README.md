# ddns

A lightweight dynamic DNS updater. It looks up the machine's public IPv4
and IPv6 addresses from configurable address services, keeps the configured
Cloudflare records (`A`, `AAAA`, `CNAME`, `SRV`) up to date with them, and
calls webhooks after each record update.

Record targets, webhook URLs and webhook bodies may use the placeholders
`${ipv4}`, `${ipv6}` and `${timestamp}`; `$$` stands for a literal `$`.

## Layout

- `src/` — the library, verified with Verus:
  - `types.rs`: the placeholder language (scanning, tokens, resolution);
  - `ip.rs`: the recorded addresses and how an address service's answer
    (plain text or JSON with a dotted key path) is read;
  - `config/`: the configuration model, its validation rules, and the store
    that keeps the accepted configuration;
  - `provider/cloudflare.rs`: paging through listings, choosing the zone and
    the record write, and the state machine of one record update;
  - `webhook.rs`: the request a webhook makes and which webhooks a record
    update triggers;
  - `text.rs`, `error.rs`: text helpers and the error type.
- `app/` — the program: command line, configuration file, timers, HTTP,
  logging.
- `tests/` — tests of the library.

## Use

- `ddns generate` writes an example `config.toml`;
- `ddns -c config.toml` runs the updater.
