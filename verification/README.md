# Range reads of serialized arrays

A segment holds one serialized array: its data buffers one after another, and a tree that says how
each node of the array is encoded and which buffers belong to it. To read a few rows, it is often
enough to fetch a small part of the segment. This library works out which part, and puts the
fetched bytes back into buffers from which the rows can be decoded.

`src/` is the library. Verus verifies every function in it against its contract, except for the
small wrappers round calls of outside crates.

* `encoding`, `arrays`, `fastlanes`: what an encoding says about reading part of an array. Every
  encoding is a `VTable`; applications can add their own.
* `analyze`: asks the encodings of a tree, and finds out which bytes of which buffers are needed.
* `plan`: turns these needs into reads of the segment: one contiguous read for the data, and further
  reads for validity buffers that lie apart, if the session allows them.
* `assemble`: takes the buffers out of the replies.
* `segments`: segments in memory and in files.
* `chunked`: writing an array in chunks.
* `flatbuffer`, `wire`, `buffer`: the outside crates that the library calls, with what it relies on
  of each of their functions.
* `analyze_laws`, `plan_laws`: what holds of the analysis and of plans. The buffers that a read
  yields consist of exactly the bytes of the segment that are needed
  (`law_range_read_from_tree_to_buffers`).
* `decoding`, `decoding_laws`, `unshared`: what decoding those buffers gives back. A decoder is any
  function from the metadata and the buffers of a node and the rows of its children to a row. If the
  encodings of a session answer rightly, a range read yields the rows that were asked for
  (`law_range_read_gives_back_the_rows`). That they do is proved of the primitive, bool, constant,
  fixed-size list, bit-packed and delta encodings.
* `arrays::primitive_laws`, `arrays::bool_laws`, `arrays::fixed_size_list_laws`: where the values of
  single rows lie in the buffers that a read yields.

`app/` adds asynchronous sources, the driver of file reads, and the writing of chunk streams.

`tests/` runs the library with its outside crates.
