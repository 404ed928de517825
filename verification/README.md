# factor_bench

Integer factorization for `u64`, verified with Verus, and the benchmark that exercises it
as an AWS Lambda function.

| Module | What it holds |
|---|---|
| `arith`, `product`, `fermat` | divisibility, greatest common divisors, primes, products, Fermat's little theorem |
| `modular` | multiplication and powers modulo a `u64`, the binary greatest common divisor |
| `miller_rabin` | the Miller-Rabin test with twelve witnesses |
| `certificate`, `known_primes` | Pocklington's criterion, and certificates of known primes |
| `primality` | `is_prime`, exact for every `u64` |
| `rho` | Brent's variant of Pollard's rho |
| `factor` | factorization into primes, in the order found and sorted |
| `display`, `reading` | numbers and factorizations as text, and the text read back |
| `report` | results and counts of a run |
| `suite` | the numbers that a run factorizes |
| `emf` | the metrics of a run in CloudWatch's embedded metric format |

`app/` is the Lambda function around the library: it takes the times, logs and prints.

## What is proved

- `is_prime` returns true for the primes and for nothing else. The Miller-Rabin test accepts
  every prime; what it accepts is confirmed by a certificate, or by trial division where no
  certificate is found.
- `factorize` terminates on every `u64` and appends primes whose product is the number. Any
  primes with that product are the same ones.
- `pollard_brent` returns the divisor that the first batch of differences with a factor in
  common with `n` yields.
- The 34 numbers of a run are distinct. The large semiprimes are products of two primes of
  8 to 10 digits, and the numbers of the prime category are primes of at most 18.
- A run whose categories report all cases counts 34 numbers and 3,134 factorizations, and
  every result is verified.
- The text of a factorization can be read back, so different factors have different texts.
- `gcd`, `mod_mul`, `mod_pow`, `verify_factors` and the texts are what their definitions say.

## What is trusted

The wrappers in `emf` around `serde_json`: building strings, numbers, arrays and objects, and
writing a value as text. That the text depends on the members alone, and not on the order in
which they were put in, rests on `serde_json`'s feature `preserve_order` being off, as it is by
default: objects are then written in the order of their keys.
