# librertc_client

The logic of the LibreRTC Windows client, verified with Verus: `olcrtc://`
link parsing, profile cleaning and checks, the imported server list (identifiers,
merging, ordering by name, selection and deletion), the connection state and
its bounded log, the runtime's command line, version comparison, the local
HTTP-to-SOCKS5 proxy's request handling and the registry commands that set and
restore the system proxy.

Layout:

- `src/` – the verified library. `laws.rs` states the properties that span
  several operations (idempotent profile cleaning, a bounded log, a strict
  version order, one server per identifier after import and deletion, and so on).
- `tests/` – tests of the library on concrete values.
- `app/` – the Tauri shell around it: window, tray, files, processes, sockets,
  HTTP requests and the Windows registry.

The payload of a link (`payload::Payload`) is a vector of entries kept in
strictly ascending key order, a type invariant, with a `Map` view. It stands in
for a `BTreeMap<String, String>`: vstd specifies `BTreeMap` only for keys that
obey its ordering model, and `String` keys are not shown to.
