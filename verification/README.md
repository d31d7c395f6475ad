# giter

A terminal tool that tells, namespace by namespace, whether what runs in a Kubernetes
cluster is the latest commit (or tag) of the repository deployed there.

- `src/` is the library, verified with Verus: image references and `git ls-remote`
  output, the verdict on each namespace, pod and container, the state of the interface
  (selection, ordering, filtering, search, pending work and the answers to it), the texts
  and widths the screens are made of, the key map and the colour palettes.
- `app/` is the program around it: the command line, `repos.json`, the cluster client,
  running `git`, opening the browser and painting the screens with ratatui. It hands the
  library plain values and performs the actions the library asks for.
- `tests/` runs the library on concrete values.
