# harvest_ui

The rules behind the user interface of Harvest, a marketplace on Freenet:
what its screens show, what its controls do, and how its background flows
move from one state to the next. The library is written in Verus, and each of
its functions is proved to do what its contract says.

- `src/` is the library. `custody_flow`, `state` and `vault` decide how a
  store's key is wrapped, recovered and registered; `delegate_migrate` carries
  the secrets of older delegates over to the present one; `bitcoin_view`,
  `payment` and `invoice_form` read payments and issue invoices; `buy_view`,
  `purchases_view`, `message_view` and `store_view` serve a buyer, and
  `my_store`, `seller_listings`, `listing_form` and `notary` a seller. The
  other modules hold what these share: text, bytes, order, dates and keyed
  collections.
- `tests/` runs the library on concrete values.
- `app/` is the browser application around it: rendering, the connection to
  the node, and the timers.

A function whose body Verus does not read names, in the comment above it, the
function it calls and what its contract claims of it.
