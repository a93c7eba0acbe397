# ovds

Vanity search for Tor v3 onion addresses, with its logic verified by Verus.

`src/` is the library. Every function in it carries a contract that Verus proves, apart
from a few wrappers around outside crates (hashes, Ed25519 keys, base32, random bytes),
whose contracts are stated next to the calls.

| Modules | What they hold |
|---|---|
| `radix`, `ring`, `product` | numerals in a base, expansions, schoolbook products |
| `primes`, `certificate`, `gf` | 2^255 - 19 is prime, and its field |
| `field`, `invert`, `bytefield` | field arithmetic on 16-bit limbs and on bytes |
| `curve`, `group`, `edwards` | the twisted Edwards curve, its group law, points on limbs |
| `batch` | many divisions at the price of one inversion, candidate batches |
| `base32`, `text` | encodings and texts |
| `crypto`, `search` | keys, addresses, patterns, key files, a round of the CPU search |
| `gpu`, `device` | what goes to the device and what comes back |
| `rate`, `stats`, `app`, `ui` | throughput, odds, the session, the screen |

`app/` is the terminal program around it: threads, files, the GPU, drawing, and figures in
floating point. It reads its compute kernels from `shaders/ed25519_keygen.wgsl`.

`tests/` runs the library against curve25519-dalek, sha2, sha3 and data-encoding.
