# projeto_rust

Medallion pipeline (bronze, silver, gold, ML) over cyber-security incident
records, with its decision logic verified in Verus.

- `src/` — the verified library:
  - `categorias` — category counts and the ranking of the most frequent
    categories for the exploratory charts;
  - `colunas` — silver-layer column selection (anti-leakage), gold-layer
    column selection, feature detection;
  - `ordem` — sorting, order statistics (median, quartiles) and the binary
    median target over order keys;
  - `ouro` — 80/20 split, ordinal label encoding, one-hot specification and
    encoding, median fill,
    IQR and z-score clipping;
  - `prata` — inner join on the incident key, the records that carry the
    target, filling of missing categories;
  - `treino` — the one-hot pairs, medians and loss quartiles learned on the
    training rows alone;
  - `metricas` — confusion-matrix counts and correct predictions;
  - `embaralhar` — the Fisher-Yates column shuffle of permutation importance;
  - `graficos` — highlighted bar, outlier split, heatmap colors and tree-node
    features of the charts.
- `app/` — the program: reading and writing Parquet/CSV with polars, the
  floating-point statistics, the smartcore decision trees and the SVG charts.
  Floating-point values reach the library as order keys (`app/chaves.rs`).
  That conversion is unverified: the library's results about medians,
  quartiles, clipping and the target carry over to the `f64` values only as
  far as those keys order as the values do.
- `tests/` — tests of the library on concrete values.
