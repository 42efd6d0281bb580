# cortex

Chat with your own documents, and a daily quiz that asks which names mean the same thing.

The library under `src/` is verified with Verus. It decides everything that can be decided without
a network, a clock, a file or a floating-point unit:

- `ai`: the requests that language-model services take, what their replies mean, and what the user
  is told when a request is refused.
- `chat`: cutting documents into passages, finding years and entities in a question, choosing
  documents and ranking passages, building prompts, and the course of one turn of a conversation.
- `quiz`: the questions whether two entities are the same, and the answers given to them.
- `profile`, `types`: the records.
- `text`, `table`, `order`, `score`, `json`: what the others are built from. Similarity scores are
  held as the bit patterns of single-precision numbers, so that ordering them is exact.

The files named `laws.rs`, and the public proof functions elsewhere, state what holds of the
library as a whole.

`app/` is the program around the library: files, HTTP, the clock, vector search and cosine
similarity. `tests/` runs the library.
