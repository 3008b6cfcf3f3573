# hash256_miner

A proof-of-work miner for the Hash256 contract, with its core verified by Verus.

A nonce solves a challenge when the Keccak-256 hash of the challenge followed
by the nonce (as a big-endian 256-bit number), read as a big-endian number, is
strictly below the contract's difficulty. The GPU searches for such nonces in
batches; the host watches the challenge and submits a found nonce with a
boosted priority fee.

## Layout

- `src/keccak.rs`: Keccak-f[1600], specified step by step (theta, rho, pi,
  chi, iota), and the one-block Keccak-256 sponge; the executable permutation
  and hash are proved to compute them.
- `src/words.rs`: the challenge and difficulty as the kernel's 32-bit words,
  the numbers they spell, and the word-wise comparison proved to be numeric.
- `src/kernel.rs`: the mining kernel on the CPU: the state it builds for a
  nonce, the hash it extracts, one work item and a whole launch.
- `src/search.rs`: the host's search state between launches and the
  challenge watcher's decision.
- `src/fees.rs`: 256-bit fees and the priority-fee boost of a submission.
- `src/config.rs`: the RPC endpoint list, the primary endpoint and the
  priority-fee setting.
- `src/hexfmt.rs`: the challenge in hexadecimal for the log.
- `src/logline.rs`: the timestamped log line, `[YYYY-MM-DD HH:MM:SS] message`.
- `app/`: the program: settings, RPC calls, the OpenCL kernel and its
  launches, logging.
