# plonky_cat

A verified toolkit of interactive proof components: finite fields
(BabyBear, Goldilocks, Mersenne31, GF(2^8)), polynomials, the NTT and the
circle group, Reed-Solomon encoding, algebraic hashes and Merkle trees, and
FRI, WHIR, sumcheck and BaseFold as claim reductions driven by a prover and
a verifier over one Fiat-Shamir transcript.

Every executable function in `src/` carries a contract over mathematical
models (field elements are viewed as their canonical integers, tables as
sequences of integers), and Verus proves the code against it. The laws that
relate several functions are public proof functions, mostly in the `laws`
modules:

- `field`: the field laws of each field; in GF(2^8) also the inverse law;
  the exact orders of the BabyBear roots of unity.
- `merkle::lemmas`: an authentication path verifies against the root.
- `code`: a Reed-Solomon codeword holds the message polynomial's values.
- `poly::multilinear`: folding and round sums of multilinear tables; every
  polynomial's table fits its number of variables (a type invariant).
- `poly::laws`: a product of polynomials evaluates to the product of values.
- `fft::laws`, `fft::inverse`, `fft::circle`: the NTT evaluates and the
  inverse NTT undoes it; the circle group laws and
  the exact order of its subgroup generators.
- `sumcheck::laws`, `fri::laws`, `basefold::laws`: completeness, round by
  round and end to end, of sumcheck (over prime fields and GF(2^8)), FRI,
  WHIR and BaseFold.
- `sumcheck::logup`: the LogUp sum of a valid lookup is zero.
- `sumcheck::gkr`: the equality-weighted sum of a layer is its multilinear
  extension at the point.
- `reduce`: the two lens laws, stated by every lens.
- `prover`: the round limit of the prover driver.
- `plonk::ccs`: the constraint polynomial's rows are what `is_satisfied`
  checks.

`tests/` runs the library on concrete values.
`app/` holds what needs formatting: the text of each error and of field
elements, polynomials and Merkle trees.
