# scandir

Fast directory iteration in the style of `os.walk()` and `os.scandir()`:
`Count` gathers statistics of a tree, `Walk` lists the names in each
directory grouped by kind, and `Scandir` reports every entry with its
metadata. The file system is read by parallel walker threads.

## Layout

- `src/` is the library, verified with Verus. It holds everything that is
  decided per entry and per result:
  - `path`: joining names onto directory paths and cutting the root prefix
    off a path, on UTF-8 text;
  - `filter`: include and exclude glob filters for directories and files;
  - `count`: how each walked entry changes the statistics, hard links
    counted once;
  - `walk`: tables of contents per directory and what a walk keeps;
  - `scandir`: turning walked entries into `DirEntry` results and what a
    scan keeps;
  - `def`, `entry`: the data types; `cabi`: the plain values of the C
    interface.
- `app/` runs the walker threads and the channels, reads the file system,
  serialises results (JSON, bincode, speedy) and offers the C interface.
- `tests/` exercises the library on concrete values.
