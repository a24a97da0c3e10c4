# hls_checks

Verified checks of HTTP Live Streaming playlists, written in Verus.

Each check takes media playlists or a multivariant playlist that have already
been read, and returns its findings. The contract of a check fixes its findings
completely: which there are, in which order, and with which words.

- `src/types.rs`: playlists, findings and interstitials.
- `src/checks/`: the checks, each with the rule that it follows.
- `src/laws/`: what the checks promise on all playlists, proved from the rules.
- `src/gather.rs`: lists put together position by position, used by all rules.
- `src/text.rs`, `src/attributes.rs`, `src/names.rs`: texts, attribute lists and
  sets of names.
- `src/double.rs`, `src/natural.rs`: floating-point numbers of double precision,
  held as their bits, with arithmetic, comparison and decimal form; and natural
  numbers of any size, in which that arithmetic is exact before it is rounded.
- `src/numeral.rs`: texts that write floating-point numbers, and the numbers
  that they write.
- `app/`: the checks for callers that hold floating-point numbers.
