# soyokaze

Building blocks of an HTTP/1, HTTP/2 and HTTP/3 implementation, each with a
contract proved by Verus.

- `src/` is the verified library:
  - `cookies`, `cookie_laws`, `cookie_codec`: `Cookie` and `Set-Cookie`
    fields and the client cookie jar, with the jar's guarantees and the
    codecs' round trips proved as lemmas;
  - `finalizer`, `hsts`: IMF-fixdate rendering over the proleptic Gregorian
    calendar, and the fields a response or request gets before it is written;
  - `headers`: connection persistence, and the cookie vocabulary;
  - `gate`: admission control by total, per-address and rate limits;
  - `client`, `server`: what a client decides around a request (how to
    dial, HSTS upgrades, the fields it sends, the cookies it keeps) and what
    a server decides before adopting sockets (versions per port, workers);
  - `tls`, `security`: ALPN negotiation and Encrypted Client Hello
    configuration lists, and what a handshake settled;
  - `models`, `errors`, `text`, `protocol`, `helpers`: the shared vocabulary;
  - `ffi`: the values that cross the C boundary, and their conversions.
- `tests/` exercises the library on concrete values.
- `app/` holds what the library does not: locks, clocks, and the conversion
  of addresses and floating-point periods.
