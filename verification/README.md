# ruplicity

A library to explore [duplicity](http://duplicity.nongnu.org/) backups, with
its behaviour stated in `requires` / `ensures` contracts and proved by Verus.

## Layout

- `src/`: the verified library.
  - `collections`: what the names of the backup files tell: backup sets,
    backup chains and signature chains (`file_naming` parses the names,
    `display` writes the collection status).
  - `manifest`: parsing of volume manifests and search of the volumes that
    hold a path.
  - `signatures`: the files of each snapshot of a signature chain, built
    from the entries of the signature archives.
  - `read`: the paths of volume entries, the decisions of reading blocks of
    a file, and the block cache.
  - `timefmt`, `time_utils`: duplicity timestamps and their pretty display.
  - `rawpath`, `bytes`, `text`, `sort`, `tarext`: paths as bytes and their
    order, text helpers, stable sorting by time, TAR header fields.
  - the crate root: `Backup`, the snapshots of a backup and their entries.
- `app/`: the command line client (`info` and `ls`), which reads the files
  of a backup directory, decompresses and unpacks the archives and hands
  their contents to the library.
- `tests/`: tests of the library on concrete values.

## Laws

Besides the contracts of each function, the library proves laws that span
several calls, for instance:

- reading the signatures of a new snapshot leaves the entries of every
  earlier snapshot unchanged (`signatures::law_earlier_snapshots_unchanged`);
- a signature chain keeps its paths sorted and records only its own
  snapshots (`signatures::law_add_next_valid`, `law_chain_of_valid`);
- backup chains are well formed and sorted by end time
  (`collections::law_backup_chains_wf`, `law_backup_chains_sorted`), and
  signature chains come in chronological order, one per full signature,
  so that they pair with them (`law_signature_chains_sorted`);
- a backup set keeps the kind and times of its first file, its manifest
  and volumes are the last of those that joined it, and it is encrypted
  when its first file is or, partial, a later one is
  (`law_set_keeps_kind`, `law_set_manifest`, `law_set_volumes`,
  `law_set_encrypted`, and over the calls that build a set,
  `law_set_calls`); a chain stays well formed as sets are added and never
  ends earlier (`law_chain_grows`, `law_chain_calls`);
- a block written into the cache is read back, the cache stays within its
  size, and a full cache drops the least recently used block
  (`read::cache::law_*`);
- the positions of the snapshots number the backup sets chain after chain,
  and the snapshot iterator walks them in that order, a full snapshot
  first in each chain and each incremental one starting where the one
  before ends (`law_snapshot_position`, `law_snapshots_walk_sets`,
  `law_snapshots_calls`, `law_snapshot_sets_follow`); a manifest kept for
  a snapshot is the one read back (`law_manifest_read_after_set`);
- path order, component by component as the standard library orders
  paths, is a total preorder (`rawpath::lemma_path_order`).
