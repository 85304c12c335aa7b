# rkubectl

Shortcuts to kubectl commands (`rkl`): give part of a pod's name and a
command (describe, delete, image, container, logs, exec); the tool finds the
pod and runs the kubectl command line for it.

- `src/` is the verified library: text handling (`text`), the middle-name
  rule (`middle`), pods and their listing lines (`pod`), kubectl command lines
  (`kubectl`), ranking by distance (`ranking`) and the lookup decisions
  (`manager`), each with its contract and the laws it keeps.
- `app/` is the program around it: command-line parsing and completion
  scripts, running kubectl, computing Jaccard distances, reading the user's
  choice and logging to stderr.
- `tests/` runs the library on concrete values.

The `exec` subcommand runs `kubectl exec -it <pod> -- sh`: it opens an
interactive shell in the pod, a line this library chose for the subcommand.
