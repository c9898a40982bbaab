# perry

The `Map` object of a NaN-boxed JavaScript runtime and the WebView widget of its
Android front end, with contracts and proofs in Verus.

- `src/value.rs`, `strings.rs`, `key.rs`: boxed values, strings, and when two
  values are the same key.
- `src/header.rs`, `side_table.rs`, `heap.rs`: one map's entries buffer, its
  index, and the heap that maps, strings and arrays live in.
- `src/map.rs`, `map_arrays.rs`, `foreach.rs`: the operations of maps.
- `src/model.rs`, `map_laws.rs`: what the operations do to a map's pairs, and
  what holds across operations.
- `src/script.rs`, `webview.rs`, `webview_laws.rs`: scripts of JNI commands, the
  WebView operations as scripts, and what holds whatever the Java VM replies.
- `app/`: the entry points over doubles, addresses and JNI.
