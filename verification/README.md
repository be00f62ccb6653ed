# riscv_vector

Execution of the RISC-V vector extension for embedded processors (Zve32x / Zve64x and the
integer part of V): the vector register file, the vector CSRs, and the instructions that
configure, load, compute on and test vectors. Every function is verified with Verus against a
contract over a mathematical model of the vector state: the register file is a sequence of bytes,
elements are little-endian values in it, mask bits are bits of its bytes.

## Layout

- `types.rs`: registers, `SEW`, `LMUL`, `EEW`, `NF`, decoded `vtype`, errors.
- `bytes.rs`, `register_file.rs`: the byte-level model and the register file.
- `state.rs`: the vector state (registers and CSRs) and its invariant.
- `config.rs`, `csr.rs`: `vsetvl`/`vsetvli`/`vsetivli` and Zicsr writes to the vector CSRs.
- `grouping.rs`: register groups, `EMUL`, alignment and overlap facts.
- `arith.rs`, `carry.rs`, `mask.rs`, `muldiv.rs`, `load.rs`: the element loops of each
  instruction class.
- `*_instructions.rs`: the legality checks of each instruction and the element operation it runs.
- `laws.rs`: properties relating several functions.

Memory is reached through the `VirtualMemory` trait, which the embedding implements.
`app/` converts between the library's types and those of `ab-riscv-primitives`.

## Not covered

The fixed-point instructions (saturating and averaging add/subtract, `vsmul`, scaling shifts,
narrowing clips with `vxrm` rounding and `vxsat`) and the permutation instructions (`vmv.x.s`,
`vmv.s.x`, slides, `vrgather`) are not part of this library, nor are stores, reductions and the
widening/narrowing add family. Neither their element operations nor their legality checks are
stated here.

`vl` is always chosen as `min(AVL, VLMAX)`; the choice is not left to the embedding.
