# ommatidia_tools

The rules behind a set of tools that make training data for a neural
reconstruction of path-traced pictures, train it, and measure it: command lines,
catalogs of assets, procedural scenes, capture plans, file formats, provenance
rules, batches, schedules, evaluation and diagnostics.

`src/` is a Verus library. Every function states what it returns in `requires`
and `ensures` clauses, and Verus proves them. Real numbers appear as the bits of
an `f32` or `f64`: the library compares, moves and selects them, and leaves
arithmetic on them to its callers. Random numbers appear as lists of draws.

| Modules | What they hold |
| --- | --- |
| `text`, `paths`, `bits`, `json`, `options` | characters, paths, the order of floating-point bits, JSON values, command lines |
| `dataset`, `model`, `pixels`, `pfm`, `image` | planes and layouts, networks, interleaving and tiles, PFM and PNG files |
| `catalog`, `furnishing` | catalogs with their families and splits, pools, and the furnishings of a scene |
| `scene`, `mesh`, `texture` | procedural scenes, their triangles and their textures |
| `generate`, `render`, `gbuffer`, `radiance`, `incident`, `field_capture` | what is captured, and in which order |
| `provenance`, `noise_risk`, `schedule`, `batcher`, `train`, `evaluator` | which captures may be used, how records are split, batched and scored |
| `transport`, `field`, `fit`, `selector`, `candidates` | training of transport and field networks, and fits on frozen observations |
| `noise_study`, `benchmark`, `compare`, `lobe_scale`, `temporal_oracle`, `reference_noise`, `oidn_reference` | measuring tools |
| `capi` | the C interface |

Public proof functions state laws that relate several functions, such as that a
PFM file reads back as what was written, that no sequence is cut by a split, or
that two captures that were found apart share no scene and no family.

What the proofs rest on besides Verus: `json` trusts `serde_json`, `image` trusts
the PNG encoder, and `text` trusts two functions of the standard library.

`tests/` runs the library on concrete values. `app/` is the command line around
it: files, processes, and everything that computes with real numbers. Datasets,
networks and the renderer come from a graphics stack that implements the traits
of `app/host.rs`.
