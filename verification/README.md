# yabiir

A log-structured hash table: a key/value store whose writes are appended to data files, with an
index in memory that maps every live key to the place of its newest value.

The library, `src/`, does no I/O. It decides what is written, where it is found again, what a
recovery makes of the files and what a merge does to them, and it says what is to be done on disk.
Verus checks it: the code is proved against the contracts that its functions carry. What is
believed without proof are the contracts of the few functions marked `external_body`, each of which
wraps one call of another crate or of the standard library and says so.

| Module | What it has |
| --- | --- |
| `format` | entries and hint records as bytes |
| `scan` | the entries of a data file, damaged ones included |
| `keydir` | the index |
| `datafile` | file names, file ids, and the file that is appended to |
| `recovery` | the index from data and hint files |
| `commit` | several writers that share one `fsync` |
| `merge` | compaction, and the proofs that it loses nothing |
| `engine` | the operations of a datastore |
| `store` | what a datastore holds, as a map |
| `history` | any run of operations does what it would do on a plain map |
| `loadtest`, `release` | what the tools decide |

The program, `app/`, has the files, the locks and the threads around it, and the command line:

```sh
yabiir kv /tmp/my-data add name yabiir
yabiir kv /tmp/my-data get name
yabiir kv /tmp/my-data merge
yabiir loadtest /tmp/load --merge-interval-secs 3
yabiir release
```

The statements about a datastore as a whole are the proof functions whose names begin with `law_`.
A good place to start is `history::law_a_datastore_is_a_map`.

One thing is known not to hold: a key that is written while a merge copies it is right as long as
the datastore stays open, but a later recovery may take the older value for the newer one.
