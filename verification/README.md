# passage

Collects the settings of proxy servers (Mieru and Hysteria2) from subscription
download scripts and writes them into the `proxies:` section of a YAML
configuration.

* `src/` is the library, verified with Verus: the YAML line grammar and the
  index of key/value lines, the rewriting of values, reading server settings
  from JSON, turning script bytes into text and finding their `wget` links, and
  the decisions of the directory walk and of numbered backups.
* `app/` is the command-line program around it: argument parsing, files,
  downloads and printing.
* `tests/` runs the library on concrete inputs, and compares its line grammars
  with the `regex` crate.
