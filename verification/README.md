# envctl_secrets

A local, single-operator secrets vault and credential broker, written and proved in Verus.

The real long-lived key never leaves the process. Clients get relay bearers, which live for at most
a day, are bound to one client, can be revoked, and work only while the key device is plugged in.
The engine decides request by request whether a bearer is swapped for the real key.

## Layout

- `src/engine/` - the operations: `init` (new vaults), `unlock` (unlock and lock), `secrets` (put and
  get), `relay` (mint, revoke, swap), `journal` (audit rows and their anchor), `model` (what each
  operation does, as mathematics).
- `src/vault/` - the state of the vault, record sealing, associated data, the audit chain, the store
  trait and the store in memory.
- `src/keyslot.rs` - wrapping of the data key per unlock factor, and the header MAC.
- `src/broker/` - relay policies, the default-deny decision, bearer tokens, the ledger.
- `src/laws/` - what holds of the library as a whole.
- `src/codec.rs`, `src/decimal.rs` - canonical encodings.
- `src/primitives.rs` - every call into another crate, with what is taken on trust of it.
- `app/` - the command line, the libSQL connection, the key-device probe, and the sender.

## What is proved

Every operation states what it returns and what it leaves in the store, with each refusal and its
reason. That holds for every input whose sizes the ciphers take, and as long as the audit log and
the row ids have room. Where the store fails by itself, an operation states what may be left
behind, and all that it tells is the mirror of a row that was written, or nothing. Which calls on
the store do not fail is said by `reliable`, call by call, and a store where none fails
(`dependable`) never makes an operation fail. What comes from the clock, the key device and the
random source is tied to the calls that gave it. The laws say among other things that

- a vault opens with the passphrase that it was made with, and with the keyfile for every probe that
  has it; without a keyfile the device opens nothing;
- what was put is what a get gives back, after any puts to other names, reads, relay operations,
  locks and unlocks;
- after any such history the vault still opens, and its audit log has no fault, from an empty store
  on;
- the anchor guards the rows of the audit log up to its own, and no others;
- data key, passphrase and keyfile get into the store through the cipher and the MACs alone;
- a broker-only secret is never given back, and nothing is without both reveal and apply;
- a changed audit row is found, and so is a truncated log, short of a collision;
- the real key goes out only where every check of the decision holds.

What cannot be proved is in `src/primitives.rs`: hashes, MACs, key derivations and the cipher are
named, not described, and the only facts used of the cipher are that a sealed text opens again and
that a text which opens was sealed.
