# search_agent

A local-first retrieval library: it indexes the documents of a folder and answers questions
from them with citations, using a local model server for embeddings and answers.

The library (`src/`) is written in Verus and proved against its contracts:

- `chunking`: token-aware chunking of text into overlapping runs of whole lines.
- `incremental`, `scan`, `indexing`, `files`: what a scan (re)indexes, the step-by-step scan
  job, how each file's text is cut, identified and recorded, and which files are read how.
- `embeddings`: the order in which embedding services are asked and when vectors are usable.
- `vector_store`: how the stored list of chunks changes on upsert and on deleting a document.
- `retrieval`, `extractive`, `prompt`: citations, hybrid merging, answers read directly from
  the context, the guarded prompt, and the decisions by which a question is answered.
- `lifecycle`: starting, reusing, stopping and reporting the local model server.
- `jobs`, `config`, `commands`, `models`, `text`: a job queue, paths, the request and
  response types, records, and text helpers.

`app/` performs the work those decisions ask for: SQLite, the vector and keyword stores on
disk, HTTP calls to the model server, processes, file extraction, and the floating-point
scoring of search results.
