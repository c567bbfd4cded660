# snarkvm_program

Verified building blocks of a zero-knowledge virtual machine, written in Verus:

- `identifier`, `program_id`: names and program IDs, with their byte format
  (read and write are proved inverse of each other).
- `reserved`: the keywords and opcodes that no declaration may take as a name.
- `program`: a program's registry of imports, interfaces, record types,
  closures and functions. Every addition is checked; the model of a program
  and the rules it keeps (`ProgramModel::valid`) are stated and proved.
- `body`: the rules on the registers of closure and function bodies (each
  register assigned once and in order, read only after it is assigned).
- `index_map`, `registry`: the insertion-ordered map of the `indexmap` crate,
  behind trusted wrappers, and a table of named items built on it.
- `field`, `record`, `state`, `values`: field elements, records and their
  commitment input, program state, and values in hashed form.
- `transition`, `request`: the checks on transitions and requests. The
  cryptography they rely on (hashes, encryption, signatures, proofs) is handed
  in by the caller as functions; the library computes what each is given (the
  bits of a function ID, the preimage `[tvk, index]` of each value's key),
  decides on what they return, and its contracts say exactly how.
- `outcomes`: what those functions may return, and the inputs the library
  hands them.
- `prover`: the constraint system a Groth16 prover fills while a circuit is
  synthesized, and how the results of its jobs are read back.

`app/` turns the library's errors into `anyhow` errors with messages.
