# Rollout controller

Restarts a Kubernetes Deployment when the image behind its tag has changed.

The controller watches the Deployments with the label `io.v0l.rollout=true`. Every five minutes it
asks the registry of a Deployment's first image for the image's digest and compares it with the one
in the annotation `io.v0l.rollout/last-digest`. Where the two differ, it stores the new digest and
restarts the pods; where there was none, it only stores the digest.

`src/` is the library, verified with Verus: what is asked of whom, how the answers are read, and
what is done about them.

| module         | holds                                                                  |
|----------------|------------------------------------------------------------------------|
| `image`        | image references                                                       |
| `challenge`    | bearer challenges of a `WWW-Authenticate` header                       |
| `token`        | requests for bearer tokens, and tokens in answers                      |
| `credentials`  | registry credentials in pull secrets                                   |
| `registry`     | the conversation with a registry, step by step                         |
| `conversation` | what whole conversations come to, as theorems                          |
| `reconcile`    | one reconciliation: what it is about, pull secrets, what is done       |
| `patch`        | the patches of a Deployment                                            |
| `digest`       | `sha256:` digests                                                      |
| `http`         | requests and responses as plain values                                 |
| `json`         | JSON documents as plain values                                         |
| `base64_text`  | base64                                                                 |
| `text`         | searching, splitting, trimming and comparing text                      |
| `error`        | what can go wrong                                                      |

`app/` is the program around it: it watches the cluster, reads secrets, sends requests and applies
patches, as the library says. `tests/` runs the library on given values.
