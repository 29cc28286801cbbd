# vanity_miner

A CPU vanity address miner: it draws key pairs until the encoded public
address starts with one of the requested prefixes. Solana (ed25519, base58
addresses) is the default chain; `--chain bitcoin` mines secp256k1 keys with
`--type legacy` (base58 `1...`) or `--type segwit` (`bc1q...`) addresses.

```
vanity_miner --prefix xyber,wotori --max-matches 0 --ignore-case --chain solana
```

Layout:

- `src/` is the verified library:
  - `matcher.rs`: prefix rules and (case-insensitive) prefix matching;
  - `config.rs`: turning `--prefix` arguments into rules (comma splitting,
    Unicode trimming, the default prefix);
  - `text.rs`: decimal notation and thousands separators;
  - `encoding.rs`: base58, hex, JSON and `Debug` byte lists;
  - `backend/`: the Solana and Bitcoin backends behind one trait;
  - `miner.rs`: attempt batching, run control and progress lines;
  - `reporter.rs`: result file names and the saved summary.
- `app/` is the command-line program: argument parsing, threads, clocks,
  floating-point statistics and file output.
- `tests/` exercises the library against the real outside crates.
