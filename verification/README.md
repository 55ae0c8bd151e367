# plutus

A verified library for reading and simulating decentralised-exchange pools on
an EVM chain (Arbitrum): Uniswap/PancakeSwap/SushiSwap V2 pools (constant
product), PancakeSwap/Uniswap V3 concentrated-liquidity pools (tick bitmap
search, swap steps, storage decoding, health checks against the chain), the
storage slots and mappings a contract's state is read from, ABI payloads for
pool swaps and for the executor contract, and the bookkeeping of a pool
registry.

Layout:

- `src/` the library, written in Verus; every function carries a contract and
  is proved. Calls into `alloy-primitives`, `alloy-sol-types`,
  `uniswap_v3_math` and `hashbrown` stand behind small trusted wrappers whose
  contracts say what those crates' sources show, and no more.
- `tests/` ordinary Rust tests of the library, many of them against the
  outside crates directly.
- `app/` the program around the library: node and database I/O, async
  plumbing, and the filtering that works in floating point.
