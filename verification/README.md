# modem

An acoustic modem: bytes are framed (header, payload, CRC-32), protected by
Reed–Solomon RS(255,223), packed into 3-bit symbols and sent as 8-FSK tones,
each frame behind a chirp preamble and a sync word; the receiver finds the
chirp, demodulates the frame behind it and reassembles the stream, which
closes with its SHA-256.

- `src/` is the library, verified with Verus: framing, the Reed–Solomon and
  checksum calls, symbol packing, PHY geometry, the transmitter's frames, the
  receiver's decisions (where to scan, when to lock or defer, what a frame's
  bytes mean), and the rank harness's classification and tally. The central
  law, that a receiver handed a transmitter's frames reports every frame and
  then the payload with a matching checksum, is `link::lemma_link_delivers_payload`.
- `app/` is the `modem` program around it: the floating-point signal
  processing (tones, Goertzel, the chirp correlator, channel models), WAV and
  audio I/O, the terminal dashboard, and the Android and browser bindings.
- `tests/` exercises the library on concrete values.
