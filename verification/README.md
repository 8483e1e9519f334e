# coffer

Encrypted, growable containers in a single file, mounted as ordinary
directories by ordinary users. A container is a SQLCipher database: directories
and files are rows, and file content is stored in blocks of 128 KiB.

`src/` is the verified library, in [Verus](https://github.com/verus-lang/verus).
It decides; it does not touch the database, the kernel or the disk.

- `fs/`: the filesystem. Each call of the kernel is a machine: it hands out
  requests to the database, takes the answers and ends with a reply. `tables`
  models the database, `laws/` states what the calls do to it: that what was
  written is read back, that a refused call changes nothing, that a call is
  done whole or not at all whatever fails on the way, and that no inode is ever
  lost or given the number of another.
- `container/`: how a container is created and opened, and every text that is
  sent to the database.
- `registry/`: the file of registered vaults. `laws/` states that reading,
  changing and writing it keeps what it does not touch, comments above all, and
  that what was registered is read back.
- `cli/`: what the commands decide.
- `mounts`, `paths`, `sizes`, `text`: the mount table, paths, sizes and
  durations, and text.

`app/` is the program around it: it runs the requests with `rusqlite`, answers
the kernel with `fuser`, and does everything else that meets the outside world.

`tests/` runs the library, the filesystem's machines against real databases.
