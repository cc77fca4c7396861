# qrender

Renders a Wikidata item as a page of fact cards and as text (plain text,
markdown, wikitext, an HTML fragment). The library is written in Verus:
every function in `src/` carries a contract, and the laws the design
promises are stated and proved there.

## Layout

- `src/sparql.rs`, `src/transform.rs`, `src/model.rs`: the query for an
  item, input validation, and the rows of a WDQS answer folded into the
  typed item (one statement per statement node, deprecated rank dropped).
- `src/cards/`: the card document. `synthesis.rs` and `quantities.rs`
  derive cards from value types, `page.rs` assembles and orders the page,
  `compose.rs` places cards into recipe sections and builds timelines,
  `density.rs` consolidates regions, `plan.rs` picks each card's
  presentation; `sources.rs` and `sparse.rs` hold laws over whole pages.
- `src/textual.rs`: the four textual backends over the card document.
- `src/legacy.rs`, `src/data_loading.rs`, `src/rendering.rs`,
  `src/render.rs`: the flat item shape the template renderers consume.
- `src/client.rs`, `src/percent.rs`: the Redis cache settings and the
  percent-encoding calls, behind small trusted wrappers.
- `app/`: the command-line tool and web server: fetching, caching,
  configuration files, JSON, templates.
- `tests/`: tests of the library on concrete items.
