# battleship_zkp

Zero-knowledge battleship: a player commits to a board (up to eight pieces on
at most 256 cells) with a SHA-256 hash, proves that the board obeys the rules,
and later proves the outcome of each attack against the committed board.

- `src/` is the Verus-verified library:
  - `words`: little-endian packing of coordinates and nonce into 64-bit
    words, big-endian words of digests, with the round-trip lemmas;
  - `digest`: SHA-256 from the `sha2` crate, behind one trusted wrapper;
  - `circuits::battleship`, `circuits::test_a`: the relations that the
    circuits' assertions impose on their wire values, as checked functions;
  - `zk_manger::battleship`: the public values of proofs and how they are
    read from public words, the wire values that the prover fills in for a
    board and for an attack, and the laws that tie them to the rules.
- `app/` is the program around it: building the circuits, proving and
  verifying with the binius proof system, serde copies of the public types.
