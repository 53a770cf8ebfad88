# cryputil

A teaching toolkit for classical and public-key cryptography. Every computation
returns a step-by-step trace (inputs, numbered steps with explanation lines and
tables, named results) in German, meant for working through exercises by hand.

The library in `src/` is written in Verus: each public function carries a
contract that states its result, and the properties that tie the schemes
together are proved as lemmas.

## Layout

- `src/math.rs`, `src/fermat.rs` — number theory: Euclid, Bézout, inverses,
  modular powers, primality, factorisation, Euler's φ, and Fermat's little
  theorem proved from the binomial theorem.
- `src/modulo/` — modular arithmetic, inverses and cyclic groups.
- `src/algorithms/` — Caesar, substitution, RSA and RSA signatures, ElGamal and
  ElGamal signatures, Diffie-Hellman, Shamir three-pass, Paillier, elliptic
  curves, Fiat-Shamir. Correctness lemmas: RSA, ElGamal, Shamir and Paillier
  decrypt what they encrypt; signatures verify; Diffie-Hellman parties agree;
  the sum of two curve points lies on the curve.
- `src/analysis/` — baby-step giant-step, Pollard rho (factorisation and
  discrete logarithm), Fermat factorisation, frequency analysis, columnar
  transposition.
- `src/playbooks/` — exam-style walkthroughs (breaking small keys from public
  values, homomorphic properties of ElGamal and Paillier).
- `src/dispatch.rs` — the fixed list of commands with their parameters; only
  listed commands are run.
- `src/menu.rs`, `src/render.rs` — terminal menus and the text layout of traces.
- `app/` — the program around the library: the interactive terminal, the HTTP
  API (`cryputil serve`) and the browser entry points.
- `tests/` — tests on concrete values.
