# fci4096

A BIP39-inspired mnemonic library using 4096 Chinese four-character idioms
as the wordlist, written in Verus with its behaviour proved.

Each idiom encodes 12 bits. Entropy of 128/160/192/224/256 bits is followed
by a checksum of one eighth of its length (the leading bits of
SHA-256(entropy)), and the bit stream is cut into 12/15/18/21/24 indices.
Seeds come from PBKDF2-HMAC-SHA512 (4096 iterations by default) over the
NFKD-normalized phrase, salted with "mnemonic" plus the NFKD-normalized
passphrase.

The wordlist is a value built from the 4096 idioms in index order
(`ChineseIdiomList::from_idioms`), or from the text of the idiom file and
the optional pinyin CSV (`ChineseIdiomList::from_text`); functions that
read or write idioms take it as an argument.

Layout:

- `src/` — the verified library: `entropy` (encoding, decoding, checksum),
  `entropy_laws` (round-trip proofs), `bitstream` (the bit-level model),
  `idiom_list` (wordlist and binary search), `wordlist_text` (parsing the
  wordlist files), `phrase` (splitting and
  joining), `mnemonic` (mnemonic type and its laws), `seed` (PBKDF2 seeds),
  `primitives` (SHA-256, PBKDF2, NFKD and the random source, behind trusted
  wrappers), `error`.
- `tests/` — unit and integration tests.
- `app/` — reading the wordlist files, `Display` for errors, serde copies of
  the types, the WASM exports and the command-line examples.
