# compact_str

A string that keeps short text inside the value and long text on the heap, verified with Verus.

`Repr` stores up to `MAX_SIZE` bytes (three words, the size of a `String`) inline. The last of
these bytes is a length, or the end of a text that fills the buffer; a heap string has the heap
marker in that place. Since no UTF-8 text ends in a byte that could be a length or the marker, the
three never collide, which `law_last_byte_is_unambiguous` states. `Repr::lemma_wf` states that the
byte agrees with where the text is.

- `src/repr.rs`: `Repr` and its operations
- `src/inline.rs`, `src/heap.rs`, `src/capacity.rs`: the two kinds of storage, and how a heap
  buffer records its size
- `src/bytes.rs`: writing into a buffer
- `src/layout.rs`: where a string is stored and how its room grows, as specifications
- `src/text.rs`: facts about UTF-8, and the trusted specifications of standard library functions
- `src/laws.rs`: what holds across operations
- `app/lib.rs`: `Extend` for iterators of characters and strings
