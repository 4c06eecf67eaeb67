# clipper_server

The metrics and the container wire format of a model-serving server, written in Verus.

`src/` is the verified library:

- `wire` — little-endian integer encodings, with the `byteorder` calls that write and read them.
- `rpc` — the batch messages sent to model containers (integers, floats as bit patterns, bytes,
  LZ4-compressed strings), their encoders and decoders, batch dispatch and the shutdown exchange.
- `roundtrip` — proofs that each decoder reads back what its encoder wrote, and what every
  message header says of its message.
- `compress` — LZ4 frame compression and UTF-8 decoding, through `lz4` and `std`.
- `counter` — counters and ratio counters.
- `reservoir` — reservoir sampling and the histogram built on it.
- `meter` — clocks and the integer bookkeeping of rate meters (when their moving averages tick).
- `report` — the text of a registry's report, built from each metric's report line.

`app/` holds what cannot be verified here: socket I/O with containers, the floating-point parts
of meters and histograms (moving averages, mean, deviation, percentiles), each metric's report line, the
registry that shares metrics between threads, and the libsvm bindings.
