# lnpbp_bip32

BIP32 helpers, verified with Verus: child indexes (unhardened and hardened,
with increments and their text forms), derivation paths (master path, split
into a hardened branch and an unhardened terminal part), index ranges, key
references, and derivation components — the descriptor
`[master xpub]/branch path=[branch xpub]/terminal path/ranges` — with its
parser, its text form and the keys it derives.

Layout:

- `src/text.rs` — decimal and hexadecimal text of integers, and splitting text at separators.
- `src/error.rs` — the BIP32 error and its messages.
- `src/index.rs` — child numbers, `ChildIndex`, `UnhardenedIndex`, `HardenedIndex`.
- `src/path.rs` — text form and split of derivation paths.
- `src/range.rs` — `DerivationRange` and its strict encoding.
- `src/xpub.rs` — extended public keys, fingerprints, identifiers, public keys, held as bytes.
- `src/branch.rs` — `XpubRef` and `BranchStep`.
- `src/grammar.rs` — the text grammar of derivation components.
- `src/components.rs` — `DerivationComponents`.
- `src/template.rs` — derivation steps and templates.
- `src/btc.rs`, `src/slip.rs` — the calls into the `bitcoin` and `slip132` crates, with what their source shows of them.
- `app/lib.rs` — `Display`, `FromStr`, `std::error::Error`, `MiniscriptKey` and strict encoding for wrappers of the library's types.
