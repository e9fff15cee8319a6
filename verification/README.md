# rdf-fusion-storage (verified core)

The verified core of a Delta-Lake backed RDF quad storage, written in Verus.

- `src/` is the library. Its functions are verified, except the small wrappers marked
  `#[verifier::external_body]` that make calls into std, `md-5` and `hashbrown`: their
  contracts are believed, and each one's doc comment says what it claims.
  - `log`, `changeset`, `partition`: the operations log, the net changeset of a stretch of it,
    its categories, and how a changeset is computed.
  - `claim`, `claimer`: object id claims, the claim metadata of local dictionaries, and the
    claim file through which nodes claim id ranges.
  - `mapping`: the in-memory object id mapping with its string interner.
  - `transaction`: transactions of the local dictionary (encoding terms to ids, recording
    batches of the global dictionary, commit and abort) and the resolution of ids to terms.
  - `in_memory`: the in-memory local dictionary, its snapshot reads, commits and aborts.
  - `writer`, `encoding`: the schedule of the shared dictionary writer and the decisions of
    the stream that encodes batches of terms.
  - `index`: index orders, scan scores and sets of index permutations.
  - `quad_index`: the traits that indexes and named graph storages implement, with the set
    model their contracts speak of.
  - `term`, `term_tuple`, `hashing`, `bytes`, `decimal`: byte encodings of terms, ids and
    hashes, and decimal text.
  - `planning`: the rules by which scans, writes, syncs and refreshes are planned.
- `app/` holds what talks to the outside: redb tables and transactions, the claim file store
  and the loop that drives the encoding stream.
- `tests/` holds the tests.
