# duckxy

On-the-fly URL-based geospatial processing using DuckDB: a path says which dataset is asked for,
which of its features, and what is to be done with them.

    /<signature>/@dataset:cities,prop:population:gt:100000/@process/reproject:3857.geojson

The library under `src/` is written in Verus and verified: reading a request, checking its signature,
finding its dataset, turning it into SQL, and deciding what is done next while it is answered. The
program under `app/` does the rest: it listens, lists directories and archives, and talks to DuckDB.

| module      | what it holds                                                     |
|-------------|-------------------------------------------------------------------|
| `url`       | the grammar of a request                                          |
| `parexp`    | patterns that stand for several values                            |
| `grammar`   | what filters, actions and outputs there are, and how more are added |
| `filters`   | filters as conditions                                             |
| `formats`   | outputs and their extensions                                      |
| `process`   | the action that reprojects                                        |
| `sql`       | the pipeline from a source to the text of a query                 |
| `ast`, `sea`| SQL as a value, and writing it out with `sea_query`               |
| `backend`   | how a database spells its operations                              |
| `dataset`   | which file, or which member of an archive, holds a dataset        |
| `query`     | the life of a query, from the description of its source to its last chunk |
| `handler`, `render`, `routes` | answers, their statuses, and what is logged     |
| `auth`      | signatures                                                        |
| `text`, `encodings` | characters, and the names of encodings                    |
