# sonar

Hybrid code search: a project is walked, its files are cut into chunks, and the chunks are found by
keywords (BM25), by embedding vectors, or by both. An index is kept in a binary cache file that is
used again as long as the file listing of the project has the same BLAKE3 hash.

The library under `src/` is verified with Verus:

- `walk` picks the files to index and tells their languages
- `index` builds an index and searches it; without an embedding model it falls back to keywords
- `groups`, `keyed` and `scores` hold the mappings and scores of chunks
- `listing` and `persist` hash file listings and write and read cache files, on top of `codec`
- `roundtrip` states what reading a cache file gives back of what was written
- `staleness` states which changes of a project make its cache stale, and which do not
- `agreement` states where building, saving and opening lead to the same index
- `engine` is the interface to chunking, tokenising, embedding and ranking; the library takes
  nothing for granted of an implementation

Scores and vector components are floats, which the library keeps as bit patterns and never computes
with. `app/` is the `sonar` command line: file access, output, and an engine.
