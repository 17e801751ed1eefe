# burn_metal

Fused inference operations for transformers on Metal, with the decisions and the integer work
verified by Verus.

- `src/` is the library. Every item in it is verified. It plans kernels (which one, how it is
  launched, what it writes, or why the operands are refused), states for every kernel which elements
  each thread reads and writes, packs and unpacks quantized words, and ranks and selects tokens.
- `app/` runs the plans: device memory, `cubecl` kernels and floating-point arithmetic. It has plain
  kernels for what no fused kernel serves.
- `tests/` runs the library on concrete values, next to plain floating-point models of the kernels.

## What is proved

Each public function says exactly what it returns and when it refuses. On top of that, public proof
functions state laws that span functions, among them:

- each quantization block becomes one row of the rearranged tensor, and a plain reshape does the same
  exactly when the block occupies a suffix of the tensor;
- expanding a packed four-bit tensor gives back every quantized value with its scale, and products
  with packed weights read the very same values and scales;
- the threads of each launch write every output element once, as long as the launch has fewer than
  2^32 cubes, and lanes and shards share out their inputs;
- the network sorts numbers, and sorted runs merge into the best logits in order, of which there is
  one list of each length;
- leading columns of a linear layer have the terms of the whole layer and depend on no other column;
- reading a row of a packed table is looking up that one index;
- a wider probability limit or more candidates never use fewer random scores;
- shards of a long context have the same maximum as the whole context.

What kernels compute with real numbers is stated in exact arithmetic:

- a packed element is the nearest multiple of its scale that four bits keep, and packing an expanded
  tensor again gives the same words, even where both ways are off by a small part, and bit for bit
  with products and quotients rounded to single precision;
- the lanes of a group add up the whole product, and linear layers with packed weights equal those
  with the expanded weights;
- the running softmax is attention by its definition, whether a context is read whole or in shards,
  and whatever the order of the shards.

## What is trusted

The block size of `burn_std` and its accessors, and `burn_std::params_shape`. Their contracts stand
in `src/scheme.rs` and `src/calibration.rs`.
