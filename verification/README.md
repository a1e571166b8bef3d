# CMVP checker

Searches the NIST lists of validated cryptographic modules by algorithm, and
the list of entropy sources by their IID claim. The library is written in Rust
and verified with Verus; the program around it is ordinary Rust.

A module search takes two paths. The search form of the site is asked first.
For a term that it finds nothing for, the security policies of the modules are
scanned: section 2.5 of a policy lists the algorithms with their certificates.
Pages, policies and their texts are kept in a cache directory, and with
`--offline` nothing but the cache is used.

## Layout

- `src/text.rs`: plain text. Words, lines, order, numerals, bytes.
- `src/models.rs`: rows, outcomes, filters, errors.
- `src/rows.rs`: rows without repeats and in order.
- `src/patterns.rs`, `src/html.rs`: what the `regex` and `scraper` crates do,
  and what is trusted of them.
- `src/listing.rs`, `src/certificates.rs`: the pages of the site.
- `src/policy.rs`: the scan of a security policy.
- `src/search.rs`, `src/esv.rs`: the two searches.
- `src/fetch.rs`: when to repeat a request, what to take from the cache.
- `src/report.rs`: tables, CSV records and the values of a JSON document.
- `src/*_laws.rs`: what holds of all of this, as proof functions.
- `app/`: arguments, network, files.

A contract is stated over what a value holds (`deep_view`): a text is its
sequence of characters, a row is a record of texts. A function that can fail
says with one equation when it succeeds, with what, and which error it gives
otherwise.
