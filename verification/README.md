# similar_images

A search for images that look alike, verified with Verus.

A search walks through folders, decodes and hashes the images that it meets, and groups those whose
64-bit hashes differ in few bits. How few is set by a similarity, from `VeryHigh` (the same hash)
to `VerySmall` (four bits).

* `src/` is the verified library. `search` holds the search itself, `walk` what it does with each
  thing that it meets in a folder, `picture` the hashing of an image, `index` and `grouping` the
  grouping, and `report` the texts that show the results. `run` says what a grouping is; `laws` and
  `multiplicity` prove what holds of every grouping, in whatever order the hashes are visited,
  `trace` what a whole walk does, `provenance` where the shown images come from, and `history` what
  holds of a search over time.
* `tests/` runs the library together with the crates that it calls.
* `app/` reads the file system for a search, and decodes the images. The rules by which folders and items are excluded are
  given to it as traits.

The items marked `external_body` are trusted: each calls one of the crates `bk-tree`,
`crossbeam-channel`, `hamming`, `humansize`, `image` or `img_hash`, or a function of the standard
library, and its comment says what is claimed of the call.
