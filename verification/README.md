# mscfb

A reader for compound files (the Microsoft Compound File Binary format, the
container of `.doc`, `.xls`, `.msg` and other files), written in Verus:
every function of the library carries a contract that Verus proves, but for
three small wrappers around standard library calls (`String::push`,
`char::to_uppercase`, `char::from_u32`), whose contracts are trusted.

## Layout

- `src/` — the verified library:
  - `bytes`, `pod`, `header`, `version`: little-endian decoding, the header
    and the two format versions;
  - `cfcore`: the file, its DIFAT, FAT and sectors;
  - `sector`, `cache`, `control`, `mini`: chains of sectors, the caches of
    their numbers, the streams the file keeps for itself, the mini stream;
  - `utf16`, `direntry`, `object`: names, directory entries, the directory
    tree and the objects (storages and streams);
  - `lib.rs`: `CompoundFile`, opened from the bytes of a file, and paths;
  - `timestamp`, `hexdump`, `in_bytes`, `text`: FILETIME dates, dumps and
    the text the tool shows;
  - `command`: the command line of the tool.
- `tests/` — tests on a compound file built in memory, and on the helpers.
- `app/` — the command line tool (`list`, `tree`, `cat`, `unpack`): file
  access, printing, and the size display in SI units, which uses floating
  point.
