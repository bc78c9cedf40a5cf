# legal-learn

Learns embeddings of Korean legal texts from the laws and precedents that the
`legal-ko` index holds.

The library in `src/` is written in Verus: each function states what it returns
in `requires` and `ensures`, and Verus proves it. The program in `app/` reads and
writes the database, runs the model with Burn and calls `llama-embedding`; it
takes its decisions from the library.

| Module | What it holds |
| --- | --- |
| `text` | characters, lines and ranges of a document |
| `data` | training pairs of precedents and laws, and how they are collected |
| `bpe` | what is relied on of the `tokenizers` crate |
| `stored` | what the JSON of a stored tokenizer describes |
| `tokenize` | training, storing and applying the tokenizer |
| `dataset` | tokenized pairs, batches and chunks |
| `model`, `loss` | sizes of the model, levels of the loss |
| `training` | split, learning-rate plan, checkpoints, export plan, stored vectors |
| `json` | what is relied on of the `serde_json` crate |
| `distill` | texts for the teacher, its answers, targets of the student |
| `eval` | held-out pairs, ranks and recall |

Functions whose names begin with `law_` are proofs of what holds of the library
as a whole, for instance that a limit only cuts the list of pairs short, that an
export writes every document once inside one transaction, or that a rank is the
place in the sorted list of candidates.

## What is not proved

- Numbers in floating point are held by their bits. Arithmetic on them, which is
  the model, the losses, the similarities and the mean reciprocal rank, is in
  `app/`.
- `bpe` and `json` state what the two outside crates do, and `distill` and `text`
  state it of one function of the standard library each. These statements are
  believed, not proved; the comments above them say what they claim.
