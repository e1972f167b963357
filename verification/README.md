# eureka_mmanager

The rules of an offline MangaDex manager, verified with Verus: where the
local store keeps things (`dirs`, `paths`), what a package holds and how
packages merge (`contents`), how a package is put together and trimmed
(`builder`), which mangas and covers a search selects (`filters`), in what
order lists come (`sort`, `orders`, `images`), what is checked and completed
before an object is stored (`push`), and how the entries of a package are
told apart (`archive`). `laws` states and proves properties that span these
operations.

`src/` is the verified library. `app/` holds the file-system, JSON/CBOR, tar
and zstd plumbing around it, the conversions from the MangaDex API types, and
what compares chapter and volume numbers as floating-point values (the
number orders and the volume summary of a manga's chapters).
`tests/` exercises the library on concrete values.
