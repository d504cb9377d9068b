# keypom

Keypom linkdrops as a verified library: drops hold bundles of assets ($NEAR, fungible and
non-fungible tokens, function calls) for each use of their access keys; funders prepay costs from
a balance; keys can be password-protected, limited to one claim method, and transferred like
non-fungible tokens.

- `src/` is the library, verified with Verus. The contract's state is modelled over plain values
  (`state.rs`); every method takes what the runtime would supply (caller, attached deposit,
  prepaid gas, block time, storage measurements, promise results) as arguments and returns the
  transfers and events to make. Calls into `near_sdk`, `hex` and `serde_json` go through the small
  trusted wrappers of `external.rs`.
- `app/` is the NEAR glue around the library: JSON forms of its types, reading the runtime,
  building promises, logging events, and what uses floating point.
- `tests/` runs the library on concrete values.

## State and storage

The contract keeps its drops, keys and balances in `near_sdk`'s storage collections
(`LookupMap`, `UnorderedMap`, `UnorderedSet`, `Vector`). Each operation on those is a read or a
write of the contract's persistent storage through the runtime's host functions, so they belong
with the runtime, not with the logic. The library holds the same state in memory: `StrMap`
(`strmap.rs`, a verified map from text keys whose view is a `Map`) and `Vec`. `app/` holds the
library's state as the contract struct; writing it to and reading it from storage (Borsh) is the
part of the runtime glue this crate leaves out, since the library's types cannot carry the
Borsh derives.

## Function call arguments

A method's arguments are prepared in three steps: `fc_claims::handle_fc_args` applies the user
arguments rule (to arguments of at most 4096 bytes) and replaces the markers, on the text;
`serde_json` parses the result into a `JsonValue`; `fc_args::add_keypom_args` writes the Keypom
arguments into that value, following dotted field names (`metadata.field`) of the drop, key and
funder fields into nested objects. It also takes the text, and refuses a field whose text
already occurs in the arguments' text (as the earlier fields leave it), and `keypom_args` where
`"keypom_args"` occurs there.
