# roder_k8s

The Kubernetes layer of roder — a terminal-style cluster dashboard — as a
library whose decisions are checked by Verus.

- `src/` is the verified library. It holds the rules: which pods block a
  drain, which relationships a resource has, which access reviews an action
  needs, how leases are taken and renewed, how Helm releases and directory
  listings are read, and which patches and objects the manual actions send.
  Every public function states its result in its contract. Calls into other
  crates (clocks, base64, gzip, YAML and JSON readers) go through small
  wrappers whose contracts name what they return.
- `app/` carries the library's decisions out against a cluster with `kube`:
  requests, watches, streams, clocks, and the floating-point metrics.
- `tests/` runs the library on concrete inputs.
