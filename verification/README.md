# score_topn

For a query such as

```sql
SELECT ... WHERE t ==> q ORDER BY zdb.score(t.ctid) DESC LIMIT n OFFSET m
```

in which nothing between the index scan and the `LIMIT` can remove rows, it is
enough to fetch the best `n + m` hits from Elasticsearch. This crate decides
when that is so, and rewrites the query tree: the right side of `==>` is wrapped
in `zdb.score_topn_limit(n + m, q)`. Postgres still sorts, limits and offsets.

The setting `zdb.score_topn_pushdown` is `off`, `strict` (the default: the score
must be the only sort key) or `primary` (it must be the first one).

## Layout

- `src/` is the library, verified with Verus.
  - `tree`: the query tree.
  - `gucs`: the setting.
  - `catalog`: the catalog objects that the rewrite refers to.
  - `lazy`: those objects, looked up once and only when they are needed.
  - `limit`: `score_topn_limit` itself.
  - `scan`: searches through expression trees.
  - `pushdown`: the safety analysis, the rewrite and the walk over all levels.
  - `laws`: what holds of every rewrite.
  - `semantics`, `answers`: what a query level answers, and that the rewrite
    keeps the answers.
  - `executions`: the same for whole queries, sub-queries and all.
  - `seqs`: facts about sequences that the proofs use.
- `tests/` runs the library on query trees and small tables.
- `app/` is the Postgres extension around it: it reads the planner's tree, asks
  the catalogs and writes the rewrite back.

## What is not proved

The three functions of `once_cell` that `lazy` calls are described there by
contracts that Verus takes as they are. Everything that `app/` does, and what
Elasticsearch returns for a limited search, is outside the proofs; what the
answers rest on is stated as the hypotheses of the laws in `answers` and
`executions`.
