# apt-fetcher

Fetches the packages which are in need of being updated, updates the distribution
files of the apt sources, and upgrades the apt sources from one suite to another.

`src/` is the library. It decides what is to be fetched, from where and to where,
checks what was fetched, and says what comes next; its functions have contracts that
Verus proves. It performs no input or output of its own.

| module | what it is about |
|---|---|
| `uris` | the package URIs that `apt-get` prints |
| the crate root | where a package is fetched from and to |
| `keyring`, `packets` | the keys that apt trusts, and the signatures of release files |
| `release` | release files and the files that they list |
| `dist::entries` | the files that an update fetches out of those |
| `dist::checksum` | the check of fetched files |
| `dist::update` | the update of the distribution files |
| `dist::upgrade` | the upgrade from one suite to another |
| `upgrade` | the upgrade of all packages |
| `decompressor` | the reading of compressed files |
| `text`, `command`, `errors` | what the others share |

`app/` is the program around the library: processes, files, the network and the apt
source lists.

What other crates compute is stated in the contracts of the functions that call them,
each marked `external_body`, over names such as `keyring::refusal` or
`release::release_sums`.
