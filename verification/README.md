# ddust

Finds dust outputs in descriptor wallets and disposes of them: a small transaction spends all
dust of one address to an `OP_RETURN` output and leaves its whole value as fee, so that the dust
is never spent together with other coins. Disposals that wait in the mempool are merged into the
new one where the network would accept the replacement.

`src/` is a Verus library. It holds the rules on plain values and proves them:

- which outputs are dust, how they are listed, and which of them are spent by address (`dust`,
  `address`); dust at an address that also guards funds is left alone unless it is asked for
- which transactions are disposals (`disposal`)
- which of them a replacement merges (`batch`), by ascending fee rate, while the dust pays for
  the bandwidth and the fee rate of the replacement exceeds that of each
- the transaction to sign (`spend`), which is only laid out where it pays at least 0.1 satoshi a
  virtual byte once it is signed, and the order in which wallets and node are asked for what it
  takes (`session`)
- the transaction of a signed PSBT (`psbt`)
- the wallets that a descriptor makes, their names, and how they are brought up to date
  (`wallet`, `chain`)
- the sizes of disposal transactions (`calc`, `size`)

Sizes are counted in quarters of a virtual byte and fee rates are kept as ratios, so nothing is
rounded. Scripts, addresses, descriptors, signatures and PSBTs are read and written by the
`bitcoin`, `miniscript` and `bdk_wallet` crates; the functions marked `external_body` are the
calls into them, each with what is relied on.

The laws that span several functions are public proof functions beside them, among them
`lemma_replacement_accepted`, `lemma_plan_follows_protocol`, `lemma_plan_is_disposal`,
`lemma_inputs_kept`, `lemma_signed_floor`, `lemma_planned_pays`, `lemma_selected_dust`,
`lemma_found_share_burn`, `lemma_synced_to_tip` and `lemma_dialogue`.

`app/` is the command line tool around the library: arguments, logging, the node and the wallet
store.
