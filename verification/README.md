# mediaserver

A home media server: a catalog of movies, TV shows and music, kept current by
a scanner, tidied by an enricher, and served to browsers and UPnP renderers.

The rules of all this are a library, `src/`, whose functions carry contracts
that Verus proves. What reads and writes files, sockets, databases and
processes is ordinary Rust around it, in `app/`.

- `src/db`: the catalog. Names and paths to titles, file formats, subtitles,
  the merging of a program's files into one listing.
- `src/scanner`: what a change on disk means for the catalog, what a media
  file's tags and sidecars say, and the matching of a season's intros.
- `src/enrich`: when a file is remuxed, normalized or captioned, with which
  arguments, and whether the result may replace the original.
- `src/server`: object ids, the browse tree, pages, search, SOAP, SSDP, art,
  profiles and what each viewer has watched.
- `src/*.rs`: texts, numbers, orders, JSON, XML, digests and patterns. The
  calls into other crates stand here and in a few modules above, each behind a
  function whose contract says what is relied on.

Public proof functions state what holds of the library as a whole: that a
remux keeps every track, that an object id reads back as itself, that a
stripped file has no title left.
