# spark_api

The control plane of Spark, a self-hosted PaaS: push to Git, get a built,
routed application on your own Kubernetes cluster.

- `src/` is the verified library: input validation, login attempt limiting,
  session tokens, webhook verification and push decisions, Kubernetes resource
  quantities, names and manifests, the reading of cluster state (build
  outcomes, certificate state, application health), environment Secret
  updates, configuration parsing, reading the commit a branch points at from
  a git ref advertisement, and every decision of the deploy worker.
  Each public function carries a contract that Verus proves; the properties
  that span functions are stated as `law_*` proof functions.
- `tests/` runs the library on concrete values.
- `app/` is the server around it: axum routes, Postgres access through sqlx,
  the kube client, the HTTP fetch of ref advertisements, the worker loop and
  the clock.

The server needs Postgres and a Kubernetes cluster.
