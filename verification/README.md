# dotman

A verified library for `dotman`, a manager of Unix dotfiles: it copies each
managed path into `~/.config/dotman/files/`, replaces the original with a
symbolic link, and records the mapping in `index.yaml`.

- `src/` is the library, verified with Verus: path reading and normalization
  (`path`), the registry and its checks (`registry`), the repository layout
  and `init` (`store`), the decisions of `add`, `remove`, `restore` and
  `status` (`commands`), tree copying (`copy`), Git command lines (`git`), the
  order of the work of `add` and `remove` (`steps`), the command-line grammar
  (`cli`), and properties across them (`laws`).
- `app/` is the program: it reads the command line, the filesystem and Git,
  and acts on what the library decides.
- `tests/` runs the library on concrete values, comparing its path reading
  with `std::path` and its command-line grammar with `clap`.
